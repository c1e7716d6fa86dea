use tmpfiles::common::action::{Mode, MODE_MAX};
use tmpfiles::parser::error::{ErrorKind, Field, ParseError};
use tmpfiles::parser::{mode, non_empty_mode};

fn malformed() -> ParseError {
    ParseError {
        kind: ErrorKind::MalformedMode,
        field: Field::Mode,
        offset: 0,
    }
}

#[test]
fn defaults_for_files_and_folders() {
    assert_eq!(
        Mode {
            masked: false,
            mode: 0o644
        },
        Mode::default_for_file()
    );
    assert_eq!(
        Mode {
            masked: false,
            mode: 0o755
        },
        Mode::default_for_folder()
    );
    assert_eq!(
        Mode {
            masked: true,
            mode: 0o4755
        },
        Mode::new(true, 0o4755)
    );
    assert_eq!(0o7777, MODE_MAX);
}

#[test]
fn three_and_four_digits_with_and_without_the_zero() {
    assert_eq!((&b""[..], Mode::new(false, 0o644)), non_empty_mode(b"644").unwrap());
    assert_eq!((&b""[..], Mode::new(false, 0o644)), non_empty_mode(b"0644").unwrap());
    assert_eq!((&b""[..], Mode::new(false, 0o644)), non_empty_mode(b"00644").unwrap());
    assert_eq!((&b""[..], Mode::new(false, 0o4755)), non_empty_mode(b"4755").unwrap());
    assert_eq!((&b""[..], Mode::new(false, 0o4755)), non_empty_mode(b"04755").unwrap());
    assert_eq!((&b""[..], Mode::new(false, 0)), non_empty_mode(b"000").unwrap());
    assert_eq!((&b""[..], Mode::new(false, 0)), non_empty_mode(b"0000").unwrap());
    assert_eq!((&b""[..], Mode::new(false, 0o7777)), non_empty_mode(b"7777").unwrap());
    assert_eq!((&b""[..], Mode::new(true, 0o7777)), non_empty_mode(b"~07777").unwrap());
    assert_eq!((&b""[..], Mode::new(true, 0o123)), non_empty_mode(b"~123").unwrap());
}

#[test]
fn a_zero_at_the_head_counts_as_a_digit_or_leads_four() {
    assert_eq!((&b""[..], Some(Mode::new(false, 0o12))), mode(b"012").unwrap());
    assert_eq!((&b" "[..], Some(Mode::new(true, 0o12))), mode(b"~012 ").unwrap());
    assert_eq!((&b""[..], Some(Mode::new(false, 0o12))), mode(b"0012").unwrap());
    assert_eq!((&b""[..], Some(Mode::new(false, 0o123))), mode(b"0123").unwrap());
    assert_eq!((&b""[..], Some(Mode::new(false, 0o1234))), mode(b"01234").unwrap());
    assert_eq!((&b"5"[..], Some(Mode::new(false, 0o1234))), mode(b"012345").unwrap());
    assert_eq!((&b"4"[..], Some(Mode::new(false, 0o64))), mode(b"000644").unwrap());
    assert_eq!((&b"8"[..], Some(Mode::new(false, 0o64))), mode(b"0648").unwrap());
}

#[test]
fn what_follows_the_digits_is_left_unread() {
    assert_eq!((&b" x"[..], Some(Mode::new(false, 0o755))), mode(b"0755 x").unwrap());
    assert_eq!((&b"5"[..], Some(Mode::new(false, 0o1234))), mode(b"12345").unwrap());
    assert_eq!((&b"8"[..], Some(Mode::new(false, 0o755))), mode(b"07558").unwrap());
    assert_eq!((&b"x"[..], Some(Mode::new(false, 0o644))), mode(b"644x").unwrap());
    assert_eq!((&b"644"[..], None), mode(b"-644").unwrap());
}

#[test]
fn malformed_modes() {
    for input in [
        &b"~"[..],
        b"0",
        b"07",
        b"64",
        b"08",
        b"888",
        b"rwx",
        b"~~644",
        b"~-",
        b" 644",
        b"6 44",
        b"+644",
    ] {
        assert_eq!(Err(malformed()), mode(input), "{:?}", input);
        assert_eq!(Err(malformed()), non_empty_mode(input), "{:?}", input);
    }
}

#[test]
fn no_mode_at_the_end_of_the_input() {
    let truncated = ParseError {
        kind: ErrorKind::TruncatedLine,
        field: Field::Mode,
        offset: 0,
    };
    assert_eq!(Err(truncated), mode(b""));
    assert_eq!(Err(truncated), non_empty_mode(b""));
}

#[test]
fn the_placeholder_is_no_mode_that_is_given() {
    assert_eq!((&b""[..], None), mode(b"-").unwrap());
    assert_eq!(Err(malformed()), non_empty_mode(b"-"));
}

#[test]
fn every_mode_of_four_digits_is_read_as_its_value() {
    for value in 0..=MODE_MAX {
        let text = format!("{:04o}", value);
        assert_eq!(
            (&b""[..], Some(Mode::new(false, value))),
            mode(text.as_bytes()).unwrap()
        );
        let masked = format!("~{:04o} ", value);
        assert_eq!(
            (&b" "[..], Some(Mode::new(true, value))),
            mode(masked.as_bytes()).unwrap()
        );
    }
}
