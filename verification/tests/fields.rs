use tmpfiles::common::action::{Action, CleanupAge, Group, ItemTypes, Mode, User};
use tmpfiles::parser::{age, argument, group, item_type, mode, parse_line, user};

#[test]
fn age_test_age() {
    assert_eq!(None, age(b"-").unwrap().1,);

    assert_eq!(
        Some(CleanupAge::new(5_000_000, false)),
        age(b"5s").unwrap().1,
    );

    assert_eq!(
        Some(CleanupAge::new(60_000_000, false)),
        age(b"1m").unwrap().1,
    );

    assert_eq!(
        Some(CleanupAge::new(110_000_000, false)),
        age(b"1m50s").unwrap().1,
    );

    assert_eq!(
        Some(CleanupAge::new(60_000_000, false)),
        age(b"60 ").unwrap().1,
    );
}

#[test]
fn mod_test_parse_item_type() {
    assert_eq!(
        (ItemTypes::RELABEL_PATH, false, false, false),
        item_type(b"z ").unwrap().1
    );

    assert_eq!(
        (ItemTypes::RELABEL_PATH, true, false, false),
        item_type(b"z! ").unwrap().1
    );

    assert_eq!(
        (ItemTypes::RELABEL_PATH, false, true, false),
        item_type(b"z+ ").unwrap().1
    );

    assert_eq!(
        (ItemTypes::RELABEL_PATH, false, false, true),
        item_type(b"z- ").unwrap().1
    );
}

#[test]
fn mod_test_parse_item_type_error() {
    assert!(item_type(b"y ").is_err());
    assert!(item_type(b"foobar").is_err());
}

#[test]
fn mod_test_mode() {
    assert_eq!(Some(Mode::new(false, 0o644)), mode(b"0644").unwrap().1);

    assert_eq!(Some(Mode::new(false, 0o4755)), mode(b"04755").unwrap().1);

    assert_eq!(Some(Mode::new(true, 0o444)), mode(b"~0444").unwrap().1);

    assert_eq!(None, mode(b"-").unwrap().1);
}

#[test]
fn mod_test_user() {
    assert_eq!(Some(User::ID(0)), user(b"0").unwrap().1);
    assert_eq!(Some(User::ID(42)), user(b"42").unwrap().1);
    assert_eq!(Some(User::Name(b"root")), user(b"root").unwrap().1);
    assert_eq!(Some(User::Name(b"nobody")), user(b"nobody").unwrap().1);
    assert_eq!(None, user(b"-").unwrap().1);
}

#[test]
fn mod_test_group() {
    assert_eq!(Some(Group::ID(0)), group(b"0").unwrap().1);
    assert_eq!(Some(Group::ID(42)), group(b"42").unwrap().1);
    assert_eq!(Some(Group::Name(b"root")), group(b"root").unwrap().1);
    assert_eq!(Some(Group::Name(b"nogroup")), group(b"nogroup").unwrap().1);
    assert_eq!(None, group(b"-").unwrap().1);
}

#[test]
fn mod_test_argument() {
    assert_eq!(None, argument(b"-").unwrap().1);

    assert_eq!(None, argument(b"").unwrap().1);

    assert_eq!(
        Some(&b"Egg and bacon\n Egg, sausage and bacon\nEgg and Spam"[..]),
        argument(b"Egg and bacon\n Egg, sausage and bacon\nEgg and Spam")
            .unwrap()
            .1
    );
}

#[test]
fn mod_test_parse_line() {
    assert_eq!(
        Action {
            action_type: ItemTypes::RELABEL_PATH,
            path: b"/tmp/z/f",
            mode: Some(Mode::new(false, 0o755)),
            user: Some(User::Name(b"daemon")),
            group: Some(Group::Name(b"daemon")),
            ..Action::default()
        },
        parse_line(b"z     /tmp/z/f    0755 daemon daemon - -")
            .unwrap()
            .1
    );

    assert_eq!(
        Action {
            action_type: ItemTypes::CREATE_FILE,
            path: b"/tmp/z/f",
            mode: Some(Mode::new(false, 0o755)),
            user: Some(User::Name(b"daemon")),
            group: Some(Group::Name(b"daemon")),
            ..Action::default()
        },
        parse_line(b"f     /tmp/z/f    0755 daemon daemon - -")
            .unwrap()
            .1
    );

    assert_eq!(
        Action {
            action_type: ItemTypes::CREATE_DIRECTORY,
            path: b"/tmp/z/f",
            mode: Some(Mode::new(false, 0o755)),
            user: Some(User::Name(b"daemon")),
            group: Some(Group::Name(b"daemon")),
            age: Some(CleanupAge {
                age: 97_200_000_000,
                keep_first_level: false
            }),
            ..Action::default()
        },
        parse_line(b"d     /tmp/z/f    0755 daemon daemon 1d3h -")
            .unwrap()
            .1
    );

    assert_eq!(
        Action {
            action_type: ItemTypes::CREATE_DIRECTORY,
            path: b"/tmp/z/f",
            mode: Some(Mode::new(false, 0o755)),
            user: Some(User::Name(b"daemon")),
            group: Some(Group::Name(b"daemon")),
            argument: Some(b"/tmp/C/1-origin"),
            ..Action::default()
        },
        parse_line(b"d  /tmp/z/f    0755 daemon daemon - /tmp/C/1-origin")
            .unwrap()
            .1
    );
}
