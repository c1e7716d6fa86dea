use tmpfiles::common::action::{Action, CleanupAge, Group, ItemTypes, Mode, User};
use tmpfiles::parser::error::{ErrorKind, Field, ParseError};
use tmpfiles::parser::{argument, parse_line};

fn rejected(kind: ErrorKind, field: Field, offset: usize) -> Result<(), ParseError> {
    Err(ParseError {
        kind,
        field,
        offset,
    })
}

fn outcome(line: &[u8]) -> Result<(), ParseError> {
    parse_line(line).map(|_| ())
}

#[test]
fn the_argument_is_all_that_is_left() {
    assert_eq!((&b""[..], None), argument(b"-").unwrap());
    assert_eq!((&b""[..], None), argument(b"").unwrap());
    assert_eq!((&b""[..], Some(&b"-x"[..])), argument(b"-x").unwrap());
    assert_eq!((&b""[..], Some(&b"--"[..])), argument(b"--").unwrap());
    assert_eq!((&b""[..], Some(&b"-\n"[..])), argument(b"-\n").unwrap());
    assert_eq!((&b""[..], Some(&b" "[..])), argument(b" ").unwrap());
    assert_eq!((&b""[..], Some(&b"\n"[..])), argument(b"\n").unwrap());
    assert_eq!((&b""[..], Some(&b"a b\tc\n\nd "[..])), argument(b"a b\tc\n\nd ").unwrap());
    assert_eq!((&b""[..], Some(&b"\x00\xff"[..])), argument(b"\x00\xff").unwrap());
}

#[test]
fn a_directory_with_an_age() {
    let (rest, action) = parse_line(b"d  /tmp/z/f  0755 daemon daemon 1d3h -").unwrap();
    assert_eq!(&b""[..], rest);
    assert_eq!(
        Action {
            action_type: ItemTypes::CREATE_DIRECTORY,
            path: b"/tmp/z/f",
            mode: Some(Mode {
                masked: false,
                mode: 0o755
            }),
            user: Some(User::Name(b"daemon")),
            group: Some(Group::Name(b"daemon")),
            age: Some(CleanupAge {
                age: 97_200_000_000,
                keep_first_level: false
            }),
            argument: None,
            boot_only: false,
            append_or_force: false,
            allow_failure: false,
        },
        action
    );
}

#[test]
fn a_directory_with_an_argument() {
    let (rest, action) =
        parse_line(b"d  /tmp/z/f  0755 daemon daemon - /tmp/C/1-origin").unwrap();
    assert_eq!(&b""[..], rest);
    assert_eq!(
        Action {
            action_type: ItemTypes::CREATE_DIRECTORY,
            path: b"/tmp/z/f",
            mode: Some(Mode {
                masked: false,
                mode: 0o755
            }),
            user: Some(User::Name(b"daemon")),
            group: Some(Group::Name(b"daemon")),
            age: None,
            argument: Some(b"/tmp/C/1-origin"),
            boot_only: false,
            append_or_force: false,
            allow_failure: false,
        },
        action
    );
}

#[test]
fn every_field_specified() {
    let line = b"w!+-\t/run/a\xffb \t~4755 0\t65534  ~2w1ms  first line\nsecond\tline\n";
    let (rest, action) = parse_line(line).unwrap();
    assert_eq!(&b""[..], rest);
    assert_eq!(
        Action {
            action_type: ItemTypes::WRITE_FILE,
            path: b"/run/a\xffb",
            mode: Some(Mode::new(true, 0o4755)),
            user: Some(User::ID(0)),
            group: Some(Group::ID(65534)),
            age: Some(CleanupAge::new(1_209_600_001_000, true)),
            argument: Some(b"first line\nsecond\tline\n"),
            boot_only: true,
            append_or_force: true,
            allow_failure: true,
        },
        action
    );
}

#[test]
fn no_field_specified() {
    let (rest, action) = parse_line(b"x /var/tmp - - - - -").unwrap();
    assert_eq!(&b""[..], rest);
    assert_eq!(
        Action {
            action_type: ItemTypes::IGNORE_PATH,
            path: b"/var/tmp",
            ..Action::default()
        },
        action
    );
    assert_eq!(action, parse_line(b"x /var/tmp - - - - ").unwrap().1);
    assert_eq!(action, parse_line(b"x\t/var/tmp\t-\t-\t-\t-\t-").unwrap().1);
    assert_eq!(action, parse_line(b"x /var/tmp - - - ~- -").unwrap().1);
}

#[test]
fn the_default_action() {
    let action = Action::default();
    assert_eq!(ItemTypes::CREATE_DIRECTORY, action.action_type);
    assert_eq!(&b""[..], action.path);
    assert_eq!(None, action.mode);
    assert_eq!(None, action.user);
    assert_eq!(None, action.group);
    assert_eq!(None, action.age);
    assert_eq!(None, action.argument);
    assert!(!action.boot_only);
    assert!(!action.append_or_force);
    assert!(!action.allow_failure);
}

#[test]
fn a_bare_number_of_seconds_in_a_line() {
    let action = parse_line(b"e /tmp/cache 1777 root root 60 -").unwrap().1;
    assert_eq!(Some(CleanupAge::new(60_000_000, false)), action.age);
    assert_eq!(None, action.argument);
    let action = parse_line(b"e /tmp/cache 1777 root root ~0 x").unwrap().1;
    assert_eq!(Some(CleanupAge::new(0, true)), action.age);
    assert_eq!(Some(&b"x"[..]), action.argument);
}

#[test]
fn letters_in_utf8_in_a_path_and_in_names() {
    let (rest, action) = parse_line(b"d /p\xc3\xa0 0755 \xc3\x85ke \xc2\xa0 - -").unwrap();
    assert_eq!(&b""[..], rest);
    assert_eq!(&b"/p\xc3\xa0"[..], action.path);
    assert_eq!(Some(User::Name(b"\xc3\x85ke")), action.user);
    assert_eq!(Some(Group::Name(b"\xc2\xa0")), action.group);
    let action = parse_line(b"d /p\xa0x 0755 u g - -").unwrap().1;
    assert_eq!(&b"/p\xa0x"[..], action.path);
    assert_eq!(
        rejected(ErrorKind::MalformedMode, Field::Mode, 10),
        outcome(b"d /p\xa00755 u g - -")
    );
}

#[test]
fn names_that_begin_with_digits() {
    let action = parse_line(b"f /f 644 0day 3com - -").unwrap().1;
    assert_eq!(Some(User::Name(b"0day")), action.user);
    assert_eq!(Some(Group::Name(b"3com")), action.group);
}

#[test]
fn a_line_feed_at_the_end_belongs_to_the_argument() {
    let action = parse_line(b"f /f - - - - hello\n").unwrap().1;
    assert_eq!(Some(&b"hello\n"[..]), action.argument);
    let action = parse_line(b"f /f - - - - -\n").unwrap().1;
    assert_eq!(Some(&b"-\n"[..]), action.argument);
    let action = parse_line(b"f /f - - - - \n").unwrap().1;
    assert_eq!(Some(&b"\n"[..]), action.argument);
}

#[test]
fn the_line_ends_too_early() {
    assert_eq!(rejected(ErrorKind::TruncatedLine, Field::ItemType, 0), outcome(b""));
    assert_eq!(rejected(ErrorKind::TruncatedLine, Field::Path, 1), outcome(b"d"));
    assert_eq!(rejected(ErrorKind::TruncatedLine, Field::Path, 2), outcome(b"d+"));
    assert_eq!(rejected(ErrorKind::TruncatedLine, Field::Path, 2), outcome(b"d "));
    assert_eq!(rejected(ErrorKind::TruncatedLine, Field::Mode, 4), outcome(b"d /p"));
    assert_eq!(rejected(ErrorKind::TruncatedLine, Field::Mode, 6), outcome(b"d /p  "));
    assert_eq!(rejected(ErrorKind::TruncatedLine, Field::User, 9), outcome(b"d /p 0755"));
    assert_eq!(rejected(ErrorKind::TruncatedLine, Field::User, 10), outcome(b"d /p 0755 "));
    assert_eq!(rejected(ErrorKind::TruncatedLine, Field::Group, 11), outcome(b"d /p 0755 u"));
    assert_eq!(rejected(ErrorKind::TruncatedLine, Field::Group, 12), outcome(b"d /p 0755 u "));
    assert_eq!(rejected(ErrorKind::TruncatedLine, Field::Age, 13), outcome(b"d /p 0755 u g"));
    assert_eq!(rejected(ErrorKind::TruncatedLine, Field::Argument, 14), outcome(b"d /p 0755 u g "));
    assert_eq!(rejected(ErrorKind::TruncatedLine, Field::Argument, 16), outcome(b"d /p 0755 u g 1d"));
    assert_eq!(rejected(ErrorKind::TruncatedLine, Field::Argument, 15), outcome(b"d /p 0755 u g -"));
    assert_eq!(Ok(()), outcome(b"d /p 0755 u g 1d "));
    assert_eq!(Ok(()), outcome(b"d /p 0755 u g - "));
}

#[test]
fn an_unknown_type() {
    assert_eq!(
        rejected(ErrorKind::UnknownItemType('y'), Field::ItemType, 0),
        outcome(b"y /p 0755 u g - -")
    );
    assert_eq!(
        rejected(ErrorKind::UnknownItemType('m'), Field::ItemType, 0),
        outcome(b"m /p 0755 u g - -")
    );
    assert_eq!(
        rejected(ErrorKind::UnknownItemType(' '), Field::ItemType, 0),
        outcome(b" d /p 0755 u g - -")
    );
    assert_eq!(
        rejected(ErrorKind::UnknownItemType('#'), Field::ItemType, 0),
        outcome(b"# a comment")
    );
    assert_eq!(
        rejected(ErrorKind::UnknownItemType('\u{e9}'), Field::ItemType, 0),
        outcome(b"\xe9 /p 0755 u g - -")
    );
}

#[test]
fn a_separator_is_missing() {
    assert_eq!(rejected(ErrorKind::MissingSeparator, Field::ItemType, 1), outcome(b"d/p 0755 u g - -"));
    assert_eq!(rejected(ErrorKind::MissingSeparator, Field::ItemType, 1), outcome(b"dd /p 0755 u g - -"));
    assert_eq!(rejected(ErrorKind::MissingSeparator, Field::ItemType, 2), outcome(b"d-+ /p 0755 u g - -"));
    assert_eq!(rejected(ErrorKind::MissingSeparator, Field::Path, 4), outcome(b"d /p\n0755 u g - -"));
    assert_eq!(rejected(ErrorKind::MissingSeparator, Field::Path, 2), outcome(b"d \n/p 0755 u g - -"));
    assert_eq!(rejected(ErrorKind::MissingSeparator, Field::Path, 4), outcome(b"d /p\x0b0755 u g - -"));
    assert_eq!(rejected(ErrorKind::MissingSeparator, Field::User, 11), outcome(b"d /p 0755 u\rg - -"));
    assert_eq!(rejected(ErrorKind::MissingSeparator, Field::User, 11), outcome(b"d /p 0755 -u g - -"));
    assert_eq!(rejected(ErrorKind::MissingSeparator, Field::Group, 13), outcome(b"d /p 0755 u -g - -"));
    assert_eq!(rejected(ErrorKind::MissingSeparator, Field::Group, 13), outcome(b"d /p 0755 u g\n- -"));
    assert_eq!(rejected(ErrorKind::MissingSeparator, Field::User, 10), outcome(b"d /p 0755 \nu g - -"));
}

#[test]
fn a_malformed_mode() {
    assert_eq!(rejected(ErrorKind::MalformedMode, Field::Mode, 5), outcome(b"d /p 75 u g - -"));
    assert_eq!(rejected(ErrorKind::MalformedMode, Field::Mode, 5), outcome(b"d /p rwx u g - -"));
    assert_eq!(rejected(ErrorKind::MalformedMode, Field::Mode, 5), outcome(b"d /p ~ u g - -"));
    assert_eq!(rejected(ErrorKind::MalformedMode, Field::Mode, 5), outcome(b"d /p \n0755 u g - -"));
    assert_eq!(rejected(ErrorKind::MalformedMode, Field::Mode, 8), outcome(b"d /p 0758 u g - -"));
    assert_eq!(rejected(ErrorKind::MalformedMode, Field::Mode, 9), outcome(b"d /p 12345 u g - -"));
    assert_eq!(rejected(ErrorKind::MalformedMode, Field::Mode, 10), outcome(b"d /p 012345 u g - -"));
    assert_eq!(rejected(ErrorKind::MalformedMode, Field::Mode, 9), outcome(b"d /p 0755x u g - -"));
    assert_eq!(rejected(ErrorKind::MalformedMode, Field::Mode, 6), outcome(b"d /p -0755 u g - -"));
    assert_eq!(rejected(ErrorKind::MalformedMode, Field::Mode, 9), outcome(b"d /p 0755\nu g - -"));
}

#[test]
fn a_malformed_identifier() {
    assert_eq!(
        rejected(ErrorKind::MalformedNumericId, Field::User, 10),
        outcome(b"d /p 0755 4294967296 g - -")
    );
    assert_eq!(
        rejected(ErrorKind::MalformedNumericId, Field::Group, 12),
        outcome(b"d /p 0755 u 4294967296 - -")
    );
    assert_eq!(
        rejected(ErrorKind::MalformedNumericId, Field::Group, 21),
        outcome(b"d /p 0755 4294967295 99999999999999999999999 - -")
    );
    assert_eq!(Ok(()), outcome(b"d /p 0755 4294967295 4294967295 - -"));
}

#[test]
fn a_malformed_age() {
    assert_eq!(rejected(ErrorKind::MalformedDuration, Field::Age, 14), outcome(b"d /p 0755 u g 1x -"));
    assert_eq!(rejected(ErrorKind::MalformedDuration, Field::Age, 16), outcome(b"d /p 0755 u g 1d3x -"));
    assert_eq!(rejected(ErrorKind::MalformedDuration, Field::Age, 16), outcome(b"d /p 0755 u g 1s1m -"));
    assert_eq!(rejected(ErrorKind::MalformedDuration, Field::Age, 14), outcome(b"d /p 0755 u g 5us -"));
    assert_eq!(rejected(ErrorKind::MalformedDuration, Field::Age, 15), outcome(b"d /p 0755 u g -5 -"));
    assert_eq!(rejected(ErrorKind::MalformedDuration, Field::Age, 14), outcome(b"d /p 0755 u g 60\n"));
    assert_eq!(rejected(ErrorKind::MalformedDuration, Field::Age, 14), outcome(b"d /p 0755 u g 60"));
    assert_eq!(rejected(ErrorKind::MalformedDuration, Field::Age, 14), outcome(b"d /p 0755 u g \n"));
    assert_eq!(
        rejected(ErrorKind::MalformedDuration, Field::Age, 14),
        outcome(b"d /p 0755 u g 30500569w -")
    );
    assert_eq!(
        rejected(ErrorKind::MalformedDuration, Field::Age, 14),
        outcome(b"d /p 0755 u g 18446744073710 -")
    );
}

#[test]
fn the_first_error_is_reported() {
    assert_eq!(
        rejected(ErrorKind::MalformedMode, Field::Mode, 5),
        outcome(b"d /p 9 4294967296 4294967296 1x")
    );
    assert_eq!(
        rejected(ErrorKind::UnknownItemType('?'), Field::ItemType, 0),
        outcome(b"? /p 9 4294967296 4294967296 1x")
    );
}
