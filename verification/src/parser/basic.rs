//! Byte classes and the scanners that every field is built from.

use crate::parser::error::{ErrorKind, Field, ParseError};
use vstd::prelude::*;
use vstd::slice::slice_subrange;

verus! {

/// The sets of bytes that the grammar tells apart.
#[derive(Clone, Copy, Debug, PartialEq, Eq, Structural)]
pub enum ByteClass {
    /// Space and horizontal tab, the bytes of a separator.
    Blank,
    /// Every byte that is not whitespace, the bytes of a path or a name.
    Solid,
    /// `0` to `9`.
    Digit,
    /// `0` to `7`.
    OctalDigit,
    /// `a` to `z` and `A` to `Z`, the bytes of a unit of time.
    Letter,
}

/// Space or horizontal tab.
pub open spec fn is_blank(b: u8) -> bool {
    b == ' ' as u8 || b == '\t' as u8
}

/// The six bytes that are whitespace: tab, line feed, vertical tab, form
/// feed, carriage return and space. No byte above 0x7F is whitespace, so
/// that no byte of a letter written in UTF-8 ends a token.
pub open spec fn is_whitespace(b: u8) -> bool {
    ('\t' as u8 <= b && b <= '\r' as u8) || b == ' ' as u8
}

impl ByteClass {
    /// Whether `b` is in the class.
    pub open spec fn spec_contains(self, b: u8) -> bool {
        match self {
            ByteClass::Blank => is_blank(b),
            ByteClass::Solid => !is_whitespace(b),
            ByteClass::Digit => '0' as u8 <= b && b <= '9' as u8,
            ByteClass::OctalDigit => '0' as u8 <= b && b <= '7' as u8,
            ByteClass::Letter => ('a' as u8 <= b && b <= 'z' as u8) || ('A' as u8 <= b && b
                <= 'Z' as u8),
        }
    }

    /// Whether `b` is in the class.
    #[verifier::when_used_as_spec(spec_contains)]
    pub fn contains(self, b: u8) -> (r: bool)
        ensures
            r == self.spec_contains(b),
    {
        match self {
            ByteClass::Blank => b == ' ' as u8 || b == '\t' as u8,
            ByteClass::Solid => !(('\t' as u8 <= b && b <= '\r' as u8) || b == ' ' as u8),
            ByteClass::Digit => '0' as u8 <= b && b <= '9' as u8,
            ByteClass::OctalDigit => '0' as u8 <= b && b <= '7' as u8,
            ByteClass::Letter => ('a' as u8 <= b && b <= 'z' as u8) || ('A' as u8 <= b && b
                <= 'Z' as u8),
        }
    }
}

/// Every byte of `s` is in `class`.
pub open spec fn all_in(s: Seq<u8>, class: ByteClass) -> bool {
    forall|i: int| 0 <= i < s.len() ==> class.spec_contains(#[trigger] s[i])
}

/// The length of the longest prefix of `s` whose bytes are all in `class`.
pub open spec fn run_len(s: Seq<u8>, class: ByteClass) -> nat
    decreases s.len(),
{
    if s.len() > 0 && class.spec_contains(s[0]) {
        1 + run_len(s.skip(1), class)
    } else {
        0
    }
}

/// A run is a prefix, lies in its class, and stops only at the end of the
/// input or at a byte outside the class.
pub proof fn lemma_run_len(s: Seq<u8>, class: ByteClass)
    ensures
        run_len(s, class) <= s.len(),
        all_in(s.take(run_len(s, class) as int), class),
        run_len(s, class) < s.len() ==> !class.spec_contains(s[run_len(s, class) as int]),
    decreases s.len(),
{
    if s.len() > 0 && class.spec_contains(s[0]) {
        let t = s.skip(1);
        lemma_run_len(t, class);
        let n = run_len(t, class) as int;
        assert forall|i: int| 0 <= i < n + 1 implies class.spec_contains(
            #[trigger] s.take(n + 1)[i],
        ) by {
            if i > 0 {
                assert(s.take(n + 1)[i] == t.take(n)[i - 1]);
            }
        }
        if n + 1 < s.len() {
            assert(s[n + 1] == t[n]);
        }
    }
}

/// What `lemma_run_len` states of the run holds of no other length.
pub proof fn lemma_run_len_unique(s: Seq<u8>, class: ByteClass, n: int)
    requires
        0 <= n <= s.len(),
        forall|i: int| 0 <= i < n ==> class.spec_contains(#[trigger] s[i]),
        n < s.len() ==> !class.spec_contains(s[n]),
    ensures
        run_len(s, class) == n,
    decreases s.len(),
{
    if n > 0 {
        let t = s.skip(1);
        assert forall|i: int| 0 <= i < n - 1 implies class.spec_contains(#[trigger] t[i]) by {
            assert(t[i] == s[i + 1]);
        }
        if n - 1 < t.len() {
            assert(t[n - 1] == s[n]);
        }
        lemma_run_len_unique(t, class, n - 1);
    }
}

/// Counts the bytes of the longest prefix of `input` that lies in `class`.
pub fn run_length(input: &[u8], class: ByteClass) -> (n: usize)
    ensures
        n == run_len(input@, class),
        n <= input@.len(),
{
    let mut n: usize = 0;
    while n < input.len() && class.contains(input[n])
        invariant
            n <= input@.len(),
            forall|i: int| 0 <= i < n ==> class.spec_contains(#[trigger] input@[i]),
        decreases input@.len() - n,
    {
        n = n + 1;
    }
    proof {
        lemma_run_len_unique(input@, class, n as int);
    }
    n
}

/// Whether two slices hold the same bytes.
pub fn bytes_equal(a: &[u8], b: &[u8]) -> (r: bool)
    ensures
        r == (a@ == b@),
{
    if a.len() != b.len() {
        return false;
    }
    let mut i: usize = 0;
    while i < a.len()
        invariant
            a@.len() == b@.len(),
            i <= a@.len(),
            forall|j: int| 0 <= j < i ==> a@[j] == b@[j],
        decreases a@.len() - i,
    {
        if a[i] != b[i] {
            return false;
        }
        i = i + 1;
    }
    assert(a@ =~= b@);
    true
}

/// Cuts `input` in two at `at`: what is left of the cut comes second, what
/// is right of it, the rest still to be read, comes first.
pub fn split<'a>(input: &'a [u8], at: usize) -> (r: (&'a [u8], &'a [u8]))
    requires
        at <= input@.len(),
    ensures
        r.0@ == input@.skip(at as int),
        r.1@ == input@.take(at as int),
{
    (slice_subrange(input, at, input.len()), slice_subrange(input, 0, at))
}

/// Reads the longest prefix of `input` that lies in `class`, and returns
/// the rest and the prefix.
pub fn run<'a>(input: &'a [u8], class: ByteClass) -> (r: (&'a [u8], &'a [u8]))
    ensures
        r.0@ == input@.skip(run_len(input@, class) as int),
        r.1@ == input@.take(run_len(input@, class) as int),
{
    let n = run_length(input, class);
    split(input, n)
}

/// Whether `s` begins with the placeholder `-`, by which a field says
/// that it is not specified.
pub open spec fn spec_empty_placeholder(s: Seq<u8>) -> bool {
    s.len() > 0 && s[0] == '-' as u8
}

/// Reads the placeholder: where `input` begins with it, the rest of the
/// input and the character.
pub fn empty_placeholder<'a>(input: &'a [u8]) -> (r: Option<(&'a [u8], char)>)
    ensures
        r is Some <==> spec_empty_placeholder(input@),
        r matches Some((rest, c)) ==> rest@ == input@.skip(1) && c == '-',
{
    if input.len() > 0 && input[0] == '-' as u8 {
        Some((split(input, 1).0, '-'))
    } else {
        None
    }
}

/// The separator that must follow the field `after`: a run of blanks, as
/// long as it goes. The result is the length of the run. Where the input
/// has ended, the line is truncated before the next field; where another
/// byte stands, the reason depends on the field that it trails.
pub open spec fn spec_separator(s: Seq<u8>, after: Field) -> Result<int, ParseError> {
    if s.len() == 0 {
        Err(ParseError { kind: ErrorKind::TruncatedLine, field: after.spec_following(), offset: 0 })
    } else if run_len(s, ByteClass::Blank) == 0 {
        Err(ParseError { kind: after.spec_trailing(), field: after, offset: 0 })
    } else {
        Ok(run_len(s, ByteClass::Blank) as int)
    }
}

/// Reads the separator that follows the field `after` and returns the rest
/// of the input.
pub fn separator<'a>(input: &'a [u8], after: Field) -> (r: Result<&'a [u8], ParseError>)
    ensures
        match spec_separator(input@, after) {
            Ok(n) => r matches Ok(rest) && 0 < n <= input@.len() && rest@ == input@.skip(n),
            Err(e) => r == Err::<&[u8], ParseError>(e),
        },
{
    if input.len() == 0 {
        return Err(
            ParseError { kind: ErrorKind::TruncatedLine, field: after.following(), offset: 0 },
        );
    }
    let n = run_length(input, ByteClass::Blank);
    if n == 0 {
        Err(ParseError { kind: after.trailing(), field: after, offset: 0 })
    } else {
        Ok(split(input, n).0)
    }
}

/// A field and the separator after it, read as one: the value of the
/// field, and the length of both together. An error of the separator is
/// reported at the offset at which the separator was to begin.
pub open spec fn then_separator<T>(
    s: Seq<u8>,
    field: Result<(T, int), ParseError>,
    after: Field,
) -> Result<(T, int), ParseError> {
    match field {
        Err(e) => Err(e),
        Ok((value, n)) => match spec_separator(s.skip(n), after) {
            Err(e) => Err(e.spec_shifted(n)),
            Ok(m) => Ok((value, n + m)),
        },
    }
}

} // verus!
