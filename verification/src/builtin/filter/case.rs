//! The `UPPER` and `LOWER` filters.

use vstd::prelude::*;
use crate::engine::context::Context;
use crate::error::{Error, ErrorKind, ErrorView};
use crate::value::{outcome, valid_outcome, Json, Value};

verus! {

/// The upper-case form of a text, as the standard library's
/// `str::to_uppercase` maps it by Unicode's rules.
pub uninterp spec fn uppercase(s: Seq<char>) -> Seq<char>;

/// The lower-case form of a text, as the standard library's
/// `str::to_lowercase` maps it by Unicode's rules.
pub uninterp spec fn lowercase(s: Seq<char>) -> Seq<char>;

/// Calls `str::to_uppercase`, and names what it returns.
#[verifier::external_body]
fn to_uppercase(s: &str) -> (r: String)
    ensures
        r@ == uppercase(s@),
{
    s.to_uppercase()
}

/// Calls `str::to_lowercase`, and names what it returns.
#[verifier::external_body]
fn to_lowercase(s: &str) -> (r: String)
    ensures
        r@ == lowercase(s@),
{
    s.to_lowercase()
}

/// What `UPPER` gives: the upper-case form of a string, a type error for
/// anything else.
pub open spec fn upper_spec(input: Json) -> Result<Json, ErrorView> {
    match input {
        Json::String(s) => Ok(Json::String(uppercase(s))),
        _ => Err(ErrorView::bare(ErrorKind::InvalidArgumentType)),
    }
}

/// What `LOWER` gives: the lower-case form of a string, a type error for
/// anything else.
pub open spec fn lower_spec(input: Json) -> Result<Json, ErrorView> {
    match input {
        Json::String(s) => Ok(Json::String(lowercase(s))),
        _ => Err(ErrorView::bare(ErrorKind::InvalidArgumentType)),
    }
}

/// `UPPER`: a string in upper case.
pub fn upper(input: &Value, args: &[(String, Value)], context: &mut Context) -> (r: Result<
    Value,
    Error,
>)
    ensures
        outcome(r) == upper_spec(input@),
        valid_outcome(outcome(r)),
        *final(context) == *old(context),
{
    match input.as_str() {
        Some(s) => Ok(Value::String(to_uppercase(s))),
        None => Err(Error::new(ErrorKind::InvalidArgumentType)),
    }
}

/// `LOWER`: a string in lower case.
pub fn lower(input: &Value, args: &[(String, Value)], context: &mut Context) -> (r: Result<
    Value,
    Error,
>)
    ensures
        outcome(r) == lower_spec(input@),
        valid_outcome(outcome(r)),
        *final(context) == *old(context),
{
    match input.as_str() {
        Some(s) => Ok(Value::String(to_lowercase(s))),
        None => Err(Error::new(ErrorKind::InvalidArgumentType)),
    }
}

} // verus!
