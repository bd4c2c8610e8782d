//! An embeddable expression language: short textual expressions are parsed
//! into a tree and evaluated against a JSON-shaped document.
//!
//! The crate is verified with Verus. What it takes on trust is marked where
//! it stands: the standard library's case mapping.
//!
//! The library reads no clock: the host hands in the reading, and a
//! context keeps the first one.
//!
//! Floating-point arithmetic is not part of the crate: numbers of that kind
//! are carried as IEEE-754 binary64 bit patterns, compared here, and
//! computed by the [`value::float::FloatMath`] capability that the host
//! hands in.
//!
//! - [`parser`]: from text to a tree, [`parser::parse`].
//! - [`engine`]: from a tree and a document to a value, [`engine::Engine`];
//!   [`engine::semantics`] says what a tree evaluates to, and
//!   [`engine::context`] what an identifier resolves to.
//! - [`builtin`]: the filters and functions that every engine has.
//! - [`value`]: the document value model.
//! - [`error`]: the errors of all of these.

pub mod builtin;
pub mod engine;
pub mod error;
pub mod parser;
pub mod text;
pub mod value;
