//! Small searches on strings, stated over their characters.

use vstd::prelude::*;
use vstd::string::StringExecFns;

verus! {

/// The characters of a string, one by one.
pub fn chars_of(text: &str) -> (chars: Vec<char>)
    ensures
        chars@ == text@,
{
    let mut chars: Vec<char> = Vec::new();
    for c in it: text.chars()
        invariant
            it.seq() == text@,
            chars@ == text@.take(it.index()),
    {
        chars.push(c);
    }
    chars
}

/// Whether two strings hold the same characters.
pub fn same_text(left: &str, right: &str) -> (same: bool)
    ensures
        same == (left@ == right@),
{
    String::from_str(left) == String::from_str(right)
}

/// Whether `text` begins with `prefix`.
pub fn has_prefix(text: &str, prefix: &str) -> (found: bool)
    ensures
        found == prefix@.is_prefix_of(text@),
{
    let head = chars_of(prefix);
    let body = chars_of(text);
    if body.len() < head.len() {
        return false;
    }
    let mut i: usize = 0;
    while i < head.len()
        invariant
            i <= head.len() <= body.len(),
            head@ == prefix@,
            body@ == text@,
            forall|j: int| 0 <= j < i ==> head@[j] == body@[j],
        decreases head.len() - i,
    {
        if head[i] != body[i] {
            return false;
        }
        i += 1;
    }
    true
}

} // verus!
