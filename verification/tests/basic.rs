use tmpfiles::parser::basic::{
    bytes_equal, empty_placeholder, run, run_length, separator, split, ByteClass,
};
use tmpfiles::parser::error::{ErrorKind, Field, ParseError};
use tmpfiles::parser::number::push_decimal;

#[test]
fn the_bytes_of_each_class() {
    for b in 0..=255u8 {
        assert_eq!(b == b' ' || b == b'\t', ByteClass::Blank.contains(b));
        assert_eq!(
            !matches!(b, b'\t' | b'\n' | 0x0b | 0x0c | b'\r' | b' '),
            ByteClass::Solid.contains(b)
        );
        assert_eq!(b.is_ascii_digit(), ByteClass::Digit.contains(b));
        assert_eq!((b'0'..=b'7').contains(&b), ByteClass::OctalDigit.contains(b));
        assert_eq!(b.is_ascii_alphabetic(), ByteClass::Letter.contains(b));
        assert_eq!(
            b.is_ascii() && (b as char).is_whitespace(),
            !ByteClass::Solid.contains(b)
        );
    }
}

#[test]
fn a_run_is_the_longest_prefix_in_the_class() {
    assert_eq!(3, run_length(b"123abc", ByteClass::Digit));
    assert_eq!(0, run_length(b"abc123", ByteClass::Digit));
    assert_eq!(6, run_length(b"123456", ByteClass::Digit));
    assert_eq!(0, run_length(b"", ByteClass::Digit));
    assert_eq!(2, run_length(b"1289", ByteClass::OctalDigit));
    assert_eq!(3, run_length(b" \t x", ByteClass::Blank));
    assert_eq!(2, run_length(b"ab cd", ByteClass::Solid));
    assert_eq!(2, run_length(b"mS1", ByteClass::Letter));
    assert_eq!((&b"abc"[..], &b"123"[..]), run(b"123abc", ByteClass::Digit));
    assert_eq!((&b"abc"[..], &b""[..]), run(b"abc", ByteClass::Digit));
    assert_eq!((&b""[..], &b"123"[..]), run(b"123", ByteClass::Digit));
}

#[test]
fn a_cut_gives_both_sides() {
    assert_eq!((&b"cd"[..], &b"ab"[..]), split(b"abcd", 2));
    assert_eq!((&b"abcd"[..], &b""[..]), split(b"abcd", 0));
    assert_eq!((&b""[..], &b"abcd"[..]), split(b"abcd", 4));
}

#[test]
fn equal_bytes() {
    assert!(bytes_equal(b"", b""));
    assert!(bytes_equal(b"weeks", b"weeks"));
    assert!(!bytes_equal(b"weeks", b"week"));
    assert!(!bytes_equal(b"week", b"weeks"));
    assert!(!bytes_equal(b"weeks", b"weekz"));
    assert!(!bytes_equal(b"xeeks", b"weeks"));
}

#[test]
fn the_placeholder() {
    assert_eq!(Some((&b""[..], '-')), empty_placeholder(b"-"));
    assert_eq!(Some((&b"- x"[..], '-')), empty_placeholder(b"-- x"));
    assert_eq!(None, empty_placeholder(b""));
    assert_eq!(None, empty_placeholder(b" -"));
    assert_eq!(None, empty_placeholder(b"~-"));
}

#[test]
fn the_separator_behind_each_field() {
    assert_eq!(Ok(&b"x"[..]), separator(b" x", Field::Path));
    assert_eq!(Ok(&b"x "[..]), separator(b" \t\t x ", Field::Age));
    assert_eq!(Ok(&b""[..]), separator(b" ", Field::Age));
    assert_eq!(Ok(&b"\n"[..]), separator(b"\t\n", Field::Age));
    let fields = [
        (Field::ItemType, Field::Path, ErrorKind::MissingSeparator),
        (Field::Path, Field::Mode, ErrorKind::MissingSeparator),
        (Field::Mode, Field::User, ErrorKind::MalformedMode),
        (Field::User, Field::Group, ErrorKind::MissingSeparator),
        (Field::Group, Field::Age, ErrorKind::MissingSeparator),
        (Field::Age, Field::Argument, ErrorKind::MalformedDuration),
        (Field::Argument, Field::Argument, ErrorKind::MissingSeparator),
    ];
    for (field, next, trailing) in fields {
        assert_eq!(next, field.following());
        assert_eq!(trailing, field.trailing());
        assert_eq!(
            Err(ParseError {
                kind: ErrorKind::TruncatedLine,
                field: next,
                offset: 0
            }),
            separator(b"", field)
        );
        assert_eq!(
            Err(ParseError {
                kind: trailing,
                field,
                offset: 0
            }),
            separator(b"x ", field)
        );
        assert_eq!(
            Err(ParseError {
                kind: trailing,
                field,
                offset: 0
            }),
            separator(b"\n ", field)
        );
    }
}

#[test]
fn an_error_seen_from_further_left() {
    let e = ParseError {
        kind: ErrorKind::MalformedMode,
        field: Field::Mode,
        offset: 3,
    };
    assert_eq!(
        ParseError {
            kind: ErrorKind::MalformedMode,
            field: Field::Mode,
            offset: 10
        },
        e.shifted(7)
    );
    assert_eq!(e, e.shifted(0));
}

#[test]
fn the_digits_of_a_number() {
    for (n, digits) in [
        (0u64, "0"),
        (7, "7"),
        (10, "10"),
        (99, "99"),
        (100, "100"),
        (1234567890, "1234567890"),
        (u64::MAX, "18446744073709551615"),
    ] {
        let mut out = b"x".to_vec();
        push_decimal(&mut out, n);
        assert_eq!(format!("x{}", digits).as_bytes(), &out[..]);
    }
}
