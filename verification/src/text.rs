//! Text as a sequence of characters.

use vstd::prelude::*;

verus! {

/// The characters of a text.
pub fn characters(text: &str) -> (r: Vec<char>)
    ensures
        r@ == text@,
{
    let mut v: Vec<char> = Vec::new();
    for c in iter: text.chars()
        invariant
            v@ == iter.seq().take(iter.index() as int),
            iter.seq() == text@,
    {
        v.push(c);
    }
    v
}

} // verus!
