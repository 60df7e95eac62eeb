//! The lists and what is done to them.

pub mod change;
pub mod common;
pub mod delete_list;
pub mod list;
