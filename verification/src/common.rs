//! The data model shared by the parser and its users.

pub mod action;
