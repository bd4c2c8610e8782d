//! Built-in filters.

pub mod case;
pub mod trim;
