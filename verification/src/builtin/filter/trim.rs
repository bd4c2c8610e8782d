//! The `TRIM` filter.

use vstd::prelude::*;
use vstd::string::{StrSliceExecFns, StringExecFns};
use crate::engine::context::Context;
use crate::error::{Error, ErrorKind, ErrorView};
use crate::text::characters;
use crate::value::{outcome, valid_outcome, Json, Value};

verus! {

/// Whether a character is white space, as Unicode's property `White_Space`
/// has it.
pub open spec fn is_whitespace(c: char) -> bool {
    let u = c as u32;
    ||| 0x09 <= u <= 0x0D
    ||| u == 0x20
    ||| u == 0x85
    ||| u == 0xA0
    ||| u == 0x1680
    ||| 0x2000 <= u <= 0x200A
    ||| u == 0x2028
    ||| u == 0x2029
    ||| u == 0x202F
    ||| u == 0x205F
    ||| u == 0x3000
}

/// Whether every character of the text is white space.
pub open spec fn all_whitespace(s: Seq<char>) -> bool {
    forall|i: int| 0 <= i < s.len() ==> is_whitespace(#[trigger] s[i])
}

/// `t` is `s` without its leading and trailing white space: `s` is some
/// white space, then `t`, then some white space, and `t` neither starts nor
/// ends with white space.
pub open spec fn is_trimmed(s: Seq<char>, t: Seq<char>) -> bool {
    &&& exists|from: int, to: int|
        {
            &&& 0 <= from <= to <= s.len()
            &&& t == #[trigger] s.subrange(from, to)
            &&& all_whitespace(s.subrange(0, from))
            &&& all_whitespace(s.subrange(to, s.len() as int))
        }
    &&& t.len() > 0 ==> !is_whitespace(t[0]) && !is_whitespace(t.last())
}

fn whitespace(c: char) -> (r: bool)
    ensures
        r == is_whitespace(c),
{
    let u = c as u32;
    (0x09 <= u && u <= 0x0D) || u == 0x20 || u == 0x85 || u == 0xA0 || u == 0x1680 || (0x2000 <= u
        && u <= 0x200A) || u == 0x2028 || u == 0x2029 || u == 0x202F || u == 0x205F || u == 0x3000
}

/// The text without its leading and trailing white space.
pub fn trim_text(s: &str) -> (t: String)
    ensures
        is_trimmed(s@, t@),
{
    let chars = characters(s);
    let len = chars.len();
    let mut from: usize = 0;
    while from < len && whitespace(chars[from])
        invariant
            from <= len,
            len == s@.len(),
            chars@ == s@,
            all_whitespace(s@.subrange(0, from as int)),
        decreases len - from,
    {
        from = from + 1;
    }
    let mut to: usize = len;
    while to > from && whitespace(chars[to - 1])
        invariant
            from <= to <= len,
            len == s@.len(),
            chars@ == s@,
            all_whitespace(s@.subrange(to as int, len as int)),
        decreases to,
    {
        proof {
            let before = s@.subrange(to as int, len as int);
            let after = s@.subrange(to - 1, len as int);
            assert forall|i: int| 0 <= i < after.len() implies is_whitespace(
                #[trigger] after[i],
            ) by {
                if i > 0 {
                    assert(after[i] == before[i - 1]);
                }
            }
        }
        to = to - 1;
    }
    let t = String::from_str(s.substring_char(from, to));
    proof {
        assert(t@ == s@.subrange(from as int, to as int));
        if t@.len() > 0 {
            assert(t@[0] == s@[from as int]);
            assert(t@.last() == s@[to - 1]);
        }
    }
    t
}

/// What `TRIM` gives: the trimmed text of a string, a type error for
/// anything else.
pub open spec fn trim_spec(input: Json, r: Result<Json, ErrorView>) -> bool {
    match input {
        Json::String(s) => r matches Ok(Json::String(t)) && is_trimmed(s, t),
        _ => r == Err::<Json, ErrorView>(ErrorView::bare(ErrorKind::InvalidArgumentType)),
    }
}

/// `TRIM`: a string without its leading and trailing white space. White
/// space inside the string stays.
pub fn trim(input: &Value, args: &[(String, Value)], context: &mut Context) -> (r: Result<
    Value,
    Error,
>)
    ensures
        trim_spec(input@, outcome(r)),
        valid_outcome(outcome(r)),
        *final(context) == *old(context),
{
    match input.as_str() {
        Some(s) => Ok(Value::String(trim_text(s))),
        None => Err(Error::new(ErrorKind::InvalidArgumentType)),
    }
}

/// Trimming is determined: a text has one trimmed form.
pub proof fn lemma_trimmed_is_unique(s: Seq<char>, t1: Seq<char>, t2: Seq<char>)
    requires
        is_trimmed(s, t1),
        is_trimmed(s, t2),
    ensures
        t1 == t2,
{
    let (a1, b1) = choose|from: int, to: int|
        {
            &&& 0 <= from <= to <= s.len()
            &&& t1 == #[trigger] s.subrange(from, to)
            &&& all_whitespace(s.subrange(0, from))
            &&& all_whitespace(s.subrange(to, s.len() as int))
        };
    let (a2, b2) = choose|from: int, to: int|
        {
            &&& 0 <= from <= to <= s.len()
            &&& t2 == #[trigger] s.subrange(from, to)
            &&& all_whitespace(s.subrange(0, from))
            &&& all_whitespace(s.subrange(to, s.len() as int))
        };
    // Every position outside a cut is white space.
    assert forall|i: int| 0 <= i < a1 implies is_whitespace(s[i]) by {
        assert(s.subrange(0, a1)[i] == s[i]);
    }
    assert forall|i: int| 0 <= i < a2 implies is_whitespace(s[i]) by {
        assert(s.subrange(0, a2)[i] == s[i]);
    }
    assert forall|i: int| b1 <= i < s.len() implies is_whitespace(s[i]) by {
        assert(s.subrange(b1, s.len() as int)[i - b1] == s[i]);
    }
    assert forall|i: int| b2 <= i < s.len() implies is_whitespace(s[i]) by {
        assert(s.subrange(b2, s.len() as int)[i - b2] == s[i]);
    }
    if t1.len() > 0 {
        assert(t1[0] == s[a1] && t1.last() == s[b1 - 1]);
    }
    if t2.len() > 0 {
        assert(t2[0] == s[a2] && t2.last() == s[b2 - 1]);
    }
    if t1.len() == 0 && t2.len() == 0 {
        assert(t1 =~= t2);
    } else if t1.len() == 0 {
        // all of `s` is white space, so `t2` cannot start with none
        assert(is_whitespace(s[a2]));
    } else if t2.len() == 0 {
        assert(is_whitespace(s[a1]));
    } else {
        assert(a1 == a2);
        assert(b1 == b2);
    }
}

} // verus!
