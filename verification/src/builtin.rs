//! The filters and functions that every engine has.

pub mod filter;
pub mod function;
