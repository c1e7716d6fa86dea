//! A parser for the line-oriented configuration language that describes
//! the life cycle of volatile files: one directive per line, seven fields
//! set apart by blanks,
//!
//! ```text
//! TYPE[!][+][-]  PATH  MODE  USER  GROUP  AGE  ARGUMENT
//! ```
//!
//! each line read into one [`common::action::Action`] or rejected with a
//! [`parser::error::ParseError`] that names the reason, the field and the
//! offset.
//!
//! Every function is verified against a specification over sequences of
//! bytes. The specification of a line is [`parser::spec_parse_line`]; that
//! of the line which [`common::action::Action::to_line`] writes is
//! [`canonical::canonical_line`]; and [`round_trip`] proves that the one
//! undoes the other. Decimal and octal numbers are converted by the crate
//! `btoi`, whose two functions are the only code here that is trusted
//! rather than proved.

pub mod canonical;
pub mod common;
pub mod parser;
pub mod round_trip;
pub mod well_formed;
