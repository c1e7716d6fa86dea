//! The grammar of one line, field by field.

pub mod age;
pub mod basic;
pub mod error;
pub mod item;
pub mod line;
pub mod mode;
pub mod number;
pub mod owner;

pub use age::{age, spec_age};
pub use item::{item_type, item_type_char, spec_item_type, type_and_modifiers};
pub use line::{argument, parse_line, spec_argument, spec_parse_line};
pub use mode::{mode, non_empty_mode, spec_mode};
pub use owner::{group, path, spec_group, spec_path, spec_user, user};
