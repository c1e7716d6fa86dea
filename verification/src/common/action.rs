//! One directive: what to do, to which path, with which attributes.

use vstd::prelude::*;

verus! {

/// What a directive does, one kind for each type character.
#[allow(non_camel_case_types)]
#[derive(Clone, Copy, Debug, PartialEq, Eq, Structural)]
pub enum ItemTypes {
    CREATE_FILE,
    CREATE_DIRECTORY,
    TRUNCATE_DIRECTORY,
    CREATE_SUBVOLUME,
    CREATE_SUBVOLUME_INHERIT_QUOTA,
    CREATE_SUBVOLUME_NEW_QUOTA,
    CREATE_FIFO,
    CREATE_SYMLINK,
    CREATE_BLOCK_DEVICE,
    CREATE_CHAR_DEVICE,
    COPY_FILES,
    WRITE_FILE,
    EMPTY_DIRECTORY,
    SET_XATTR,
    RECURSIVE_SET_XATTR,
    SET_ACL,
    RECURSIVE_SET_ACL,
    SET_ATTRIBUTE,
    RECURSIVE_SET_ATTRIBUTE,
    IGNORE_PATH,
    IGNORE_DIRECTORY_PATH,
    REMOVE_PATH,
    RECURSIVE_REMOVE_PATH,
    RELABEL_PATH,
    RECURSIVE_RELABEL_PATH,
}

/// The characters that may open a line. Two of them, `F` and `m`, are
/// reserved: they belong to the alphabet and stand for no item type.
pub open spec fn valid_item_type_char(c: char) -> bool {
    c == 'f' || c == 'F' || c == 'd' || c == 'D' || c == 'v' || c == 'q' || c == 'Q' || c == 'p'
        || c == 'L' || c == 'c' || c == 'b' || c == 'C' || c == 'w' || c == 'e' || c == 't' || c
        == 'T' || c == 'a' || c == 'A' || c == 'h' || c == 'H' || c == 'x' || c == 'X' || c == 'r'
        || c == 'R' || c == 'z' || c == 'Z' || c == 'm'
}

/// A type character that stands for no item type.
#[derive(Clone, Copy, Debug, PartialEq, Eq, Structural)]
pub struct InvalidItemType {
    pub character: char,
}

impl ItemTypes {
    /// The item type that a character stands for, if it stands for one.
    pub open spec fn spec_of_char(c: char) -> Option<ItemTypes> {
        if c == 'f' {
            Some(ItemTypes::CREATE_FILE)
        } else if c == 'd' {
            Some(ItemTypes::CREATE_DIRECTORY)
        } else if c == 'D' {
            Some(ItemTypes::TRUNCATE_DIRECTORY)
        } else if c == 'v' {
            Some(ItemTypes::CREATE_SUBVOLUME)
        } else if c == 'q' {
            Some(ItemTypes::CREATE_SUBVOLUME_INHERIT_QUOTA)
        } else if c == 'Q' {
            Some(ItemTypes::CREATE_SUBVOLUME_NEW_QUOTA)
        } else if c == 'p' {
            Some(ItemTypes::CREATE_FIFO)
        } else if c == 'L' {
            Some(ItemTypes::CREATE_SYMLINK)
        } else if c == 'b' {
            Some(ItemTypes::CREATE_BLOCK_DEVICE)
        } else if c == 'c' {
            Some(ItemTypes::CREATE_CHAR_DEVICE)
        } else if c == 'C' {
            Some(ItemTypes::COPY_FILES)
        } else if c == 'w' {
            Some(ItemTypes::WRITE_FILE)
        } else if c == 'e' {
            Some(ItemTypes::EMPTY_DIRECTORY)
        } else if c == 't' {
            Some(ItemTypes::SET_XATTR)
        } else if c == 'T' {
            Some(ItemTypes::RECURSIVE_SET_XATTR)
        } else if c == 'a' {
            Some(ItemTypes::SET_ACL)
        } else if c == 'A' {
            Some(ItemTypes::RECURSIVE_SET_ACL)
        } else if c == 'h' {
            Some(ItemTypes::SET_ATTRIBUTE)
        } else if c == 'H' {
            Some(ItemTypes::RECURSIVE_SET_ATTRIBUTE)
        } else if c == 'x' {
            Some(ItemTypes::IGNORE_PATH)
        } else if c == 'X' {
            Some(ItemTypes::IGNORE_DIRECTORY_PATH)
        } else if c == 'r' {
            Some(ItemTypes::REMOVE_PATH)
        } else if c == 'R' {
            Some(ItemTypes::RECURSIVE_REMOVE_PATH)
        } else if c == 'z' {
            Some(ItemTypes::RELABEL_PATH)
        } else if c == 'Z' {
            Some(ItemTypes::RECURSIVE_RELABEL_PATH)
        } else {
            None
        }
    }

    /// The character that stands for this item type.
    pub open spec fn spec_to_char(self) -> char {
        match self {
            ItemTypes::CREATE_FILE => 'f',
            ItemTypes::CREATE_DIRECTORY => 'd',
            ItemTypes::TRUNCATE_DIRECTORY => 'D',
            ItemTypes::CREATE_SUBVOLUME => 'v',
            ItemTypes::CREATE_SUBVOLUME_INHERIT_QUOTA => 'q',
            ItemTypes::CREATE_SUBVOLUME_NEW_QUOTA => 'Q',
            ItemTypes::CREATE_FIFO => 'p',
            ItemTypes::CREATE_SYMLINK => 'L',
            ItemTypes::CREATE_BLOCK_DEVICE => 'b',
            ItemTypes::CREATE_CHAR_DEVICE => 'c',
            ItemTypes::COPY_FILES => 'C',
            ItemTypes::WRITE_FILE => 'w',
            ItemTypes::EMPTY_DIRECTORY => 'e',
            ItemTypes::SET_XATTR => 't',
            ItemTypes::RECURSIVE_SET_XATTR => 'T',
            ItemTypes::SET_ACL => 'a',
            ItemTypes::RECURSIVE_SET_ACL => 'A',
            ItemTypes::SET_ATTRIBUTE => 'h',
            ItemTypes::RECURSIVE_SET_ATTRIBUTE => 'H',
            ItemTypes::IGNORE_PATH => 'x',
            ItemTypes::IGNORE_DIRECTORY_PATH => 'X',
            ItemTypes::REMOVE_PATH => 'r',
            ItemTypes::RECURSIVE_REMOVE_PATH => 'R',
            ItemTypes::RELABEL_PATH => 'z',
            ItemTypes::RECURSIVE_RELABEL_PATH => 'Z',
        }
    }

    /// Resolves a type character. Every character outside the alphabet is
    /// refused, and so are the two reserved ones; the error names the
    /// character.
    pub fn try_from(type_char: char) -> (r: Result<ItemTypes, InvalidItemType>)
        ensures
            r == match ItemTypes::spec_of_char(type_char) {
                Some(t) => Ok::<ItemTypes, InvalidItemType>(t),
                None => Err(InvalidItemType { character: type_char }),
            },
            !valid_item_type_char(type_char) ==> r is Err,
    {
        match type_char {
            'f' => Ok(ItemTypes::CREATE_FILE),
            'd' => Ok(ItemTypes::CREATE_DIRECTORY),
            'D' => Ok(ItemTypes::TRUNCATE_DIRECTORY),
            'v' => Ok(ItemTypes::CREATE_SUBVOLUME),
            'q' => Ok(ItemTypes::CREATE_SUBVOLUME_INHERIT_QUOTA),
            'Q' => Ok(ItemTypes::CREATE_SUBVOLUME_NEW_QUOTA),
            'p' => Ok(ItemTypes::CREATE_FIFO),
            'L' => Ok(ItemTypes::CREATE_SYMLINK),
            'b' => Ok(ItemTypes::CREATE_BLOCK_DEVICE),
            'c' => Ok(ItemTypes::CREATE_CHAR_DEVICE),
            'C' => Ok(ItemTypes::COPY_FILES),
            'w' => Ok(ItemTypes::WRITE_FILE),
            'e' => Ok(ItemTypes::EMPTY_DIRECTORY),
            't' => Ok(ItemTypes::SET_XATTR),
            'T' => Ok(ItemTypes::RECURSIVE_SET_XATTR),
            'a' => Ok(ItemTypes::SET_ACL),
            'A' => Ok(ItemTypes::RECURSIVE_SET_ACL),
            'h' => Ok(ItemTypes::SET_ATTRIBUTE),
            'H' => Ok(ItemTypes::RECURSIVE_SET_ATTRIBUTE),
            'x' => Ok(ItemTypes::IGNORE_PATH),
            'X' => Ok(ItemTypes::IGNORE_DIRECTORY_PATH),
            'r' => Ok(ItemTypes::REMOVE_PATH),
            'R' => Ok(ItemTypes::RECURSIVE_REMOVE_PATH),
            'z' => Ok(ItemTypes::RELABEL_PATH),
            'Z' => Ok(ItemTypes::RECURSIVE_RELABEL_PATH),
            invalid => Err(InvalidItemType { character: invalid }),
        }
    }

    /// The character that stands for this item type.
    #[verifier::when_used_as_spec(spec_to_char)]
    pub fn to_char(self) -> (c: char)
        ensures
            c == self.spec_to_char(),
    {
        match self {
            ItemTypes::CREATE_FILE => 'f',
            ItemTypes::CREATE_DIRECTORY => 'd',
            ItemTypes::TRUNCATE_DIRECTORY => 'D',
            ItemTypes::CREATE_SUBVOLUME => 'v',
            ItemTypes::CREATE_SUBVOLUME_INHERIT_QUOTA => 'q',
            ItemTypes::CREATE_SUBVOLUME_NEW_QUOTA => 'Q',
            ItemTypes::CREATE_FIFO => 'p',
            ItemTypes::CREATE_SYMLINK => 'L',
            ItemTypes::CREATE_BLOCK_DEVICE => 'b',
            ItemTypes::CREATE_CHAR_DEVICE => 'c',
            ItemTypes::COPY_FILES => 'C',
            ItemTypes::WRITE_FILE => 'w',
            ItemTypes::EMPTY_DIRECTORY => 'e',
            ItemTypes::SET_XATTR => 't',
            ItemTypes::RECURSIVE_SET_XATTR => 'T',
            ItemTypes::SET_ACL => 'a',
            ItemTypes::RECURSIVE_SET_ACL => 'A',
            ItemTypes::SET_ATTRIBUTE => 'h',
            ItemTypes::RECURSIVE_SET_ATTRIBUTE => 'H',
            ItemTypes::IGNORE_PATH => 'x',
            ItemTypes::IGNORE_DIRECTORY_PATH => 'X',
            ItemTypes::REMOVE_PATH => 'r',
            ItemTypes::RECURSIVE_REMOVE_PATH => 'R',
            ItemTypes::RELABEL_PATH => 'z',
            ItemTypes::RECURSIVE_RELABEL_PATH => 'Z',
        }
    }
}

/// Each item type is resolved from the character that stands for it, and
/// that character is in the alphabet.
pub proof fn lemma_item_type_char(t: ItemTypes)
    ensures
        ItemTypes::spec_of_char(t.spec_to_char()) == Some(t),
        valid_item_type_char(t.spec_to_char()),
        (t.spec_to_char() as u32) < 0x80,
{
}

/// The characters that stand for an item type are those of the alphabet
/// but the two reserved ones, and each stands for one item type only.
pub proof fn lemma_alphabet(c: char)
    ensures
        ItemTypes::spec_of_char(c) is Some <==> valid_item_type_char(c) && c != 'F' && c != 'm',
        ItemTypes::spec_of_char(c) matches Some(t) ==> t.spec_to_char() == c,
{
}

/// The largest permission value that a mode token can spell: four octal
/// digits.
pub const MODE_MAX: u32 = 0o7777;

/// The permissions of a path. `masked` asks that they be applied only
/// where they are more permissive than those the path already has.
#[derive(Clone, Copy, Debug, PartialEq, Eq, Structural)]
pub struct Mode {
    pub masked: bool,
    pub mode: u32,
}

impl Mode {
    /// A mode of the given permissions, masked or not.
    pub fn new(masked: bool, mode: u32) -> (m: Mode)
        ensures
            m == (Mode { masked, mode }),
    {
        Mode { masked, mode }
    }

    /// The mode of a file for which the line gives none: `0644`.
    pub fn default_for_file() -> (m: Mode)
        ensures
            m == (Mode { masked: false, mode: 0o644 }),
    {
        Self::new(false, 0o644)
    }

    /// The mode of a directory for which the line gives none: `0755`.
    pub fn default_for_folder() -> (m: Mode)
        ensures
            m == (Mode { masked: false, mode: 0o755 }),
    {
        Self::new(false, 0o755)
    }
}

/// The owner of a path as the line gives it: a name, taken as it stands
/// and looked up by nobody here, or a numeric identifier.
#[derive(Clone, Copy, Debug, PartialEq, Eq)]
pub enum User<'a> {
    Name(&'a [u8]),
    ID(u32),
}

/// The group of a path, spelled as a `User` is.
#[derive(Clone, Copy, Debug, PartialEq, Eq)]
pub enum Group<'a> {
    Name(&'a [u8]),
    ID(u32),
}

/// What a `User` or a `Group` holds, the name as a sequence of bytes.
pub enum Owner {
    Name(Seq<u8>),
    ID(u32),
}

impl<'a> View for User<'a> {
    type V = Owner;

    open spec fn view(&self) -> Owner {
        match *self {
            User::Name(name) => Owner::Name(name@),
            User::ID(id) => Owner::ID(id),
        }
    }
}

impl<'a> View for Group<'a> {
    type V = Owner;

    open spec fn view(&self) -> Owner {
        match *self {
            Group::Name(name) => Owner::Name(name@),
            Group::ID(id) => Owner::ID(id),
        }
    }
}

/// How old an entry must be before a cleanup removes it, in microseconds.
/// `keep_first_level` spares the entries directly below the path.
#[derive(Clone, Copy, Debug, PartialEq, Eq, Structural)]
pub struct CleanupAge {
    pub age: u64,
    pub keep_first_level: bool,
}

impl CleanupAge {
    /// An age of `age` microseconds.
    pub fn new(age: u64, keep_first_level: bool) -> (a: CleanupAge)
        ensures
            a == (CleanupAge { age, keep_first_level }),
    {
        CleanupAge { age, keep_first_level }
    }
}

/// One line, read. The path, the names and the argument borrow from the
/// line's bytes.
#[derive(Clone, Copy, Debug, PartialEq, Eq)]
pub struct Action<'a> {
    pub action_type: ItemTypes,
    pub path: &'a [u8],
    pub mode: Option<Mode>,
    pub user: Option<User<'a>>,
    pub group: Option<Group<'a>>,
    pub age: Option<CleanupAge>,
    pub argument: Option<&'a [u8]>,
    pub boot_only: bool,
    pub append_or_force: bool,
    pub allow_failure: bool,
}

/// What an `Action` holds, each borrowed slice as a sequence of bytes.
pub struct ActionView {
    pub action_type: ItemTypes,
    pub path: Seq<u8>,
    pub mode: Option<Mode>,
    pub user: Option<Owner>,
    pub group: Option<Owner>,
    pub age: Option<CleanupAge>,
    pub argument: Option<Seq<u8>>,
    pub boot_only: bool,
    pub append_or_force: bool,
    pub allow_failure: bool,
}

/// What an optional user holds.
pub open spec fn user_view(user: Option<User>) -> Option<Owner> {
    match user {
        Some(u) => Some(u@),
        None => None,
    }
}

/// What an optional group holds.
pub open spec fn group_view(group: Option<Group>) -> Option<Owner> {
    match group {
        Some(g) => Some(g@),
        None => None,
    }
}

/// What an optional slice holds.
pub open spec fn bytes_view(bytes: Option<&[u8]>) -> Option<Seq<u8>> {
    match bytes {
        Some(b) => Some(b@),
        None => None,
    }
}

impl<'a> View for Action<'a> {
    type V = ActionView;

    open spec fn view(&self) -> ActionView {
        ActionView {
            action_type: self.action_type,
            path: self.path@,
            mode: self.mode,
            user: user_view(self.user),
            group: group_view(self.group),
            age: self.age,
            argument: bytes_view(self.argument),
            boot_only: self.boot_only,
            append_or_force: self.append_or_force,
            allow_failure: self.allow_failure,
        }
    }
}

impl<'a> Default for Action<'a> {
    /// A directory to create at the empty path, with nothing else specified.
    fn default() -> (a: Action<'a>)
        ensures
            a@ == (ActionView {
                action_type: ItemTypes::CREATE_DIRECTORY,
                path: Seq::<u8>::empty(),
                mode: None,
                user: None,
                group: None,
                age: None,
                argument: None,
                boot_only: false,
                append_or_force: false,
                allow_failure: false,
            }),
    {
        let path: &[u8] = &[];
        assert(path@ =~= Seq::<u8>::empty());
        Action {
            action_type: ItemTypes::CREATE_DIRECTORY,
            path,
            mode: None,
            user: None,
            group: None,
            age: None,
            argument: None,
            boot_only: false,
            append_or_force: false,
            allow_failure: false,
        }
    }
}

} // verus!
