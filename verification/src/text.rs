//! Text as sequences of characters.
//!
//! Every rule of this crate that looks at a name or an argument is stated over
//! `Seq<char>`, the view of a `&str`. The functions here turn a `&str` into a
//! vector of its characters and answer the two questions the rules ask most:
//! does a text begin with another, and does it end with another.

use vstd::prelude::*;

verus! {

/// The characters of `s`, in order.
pub fn chars_of(s: &str) -> (v: Vec<char>)
    ensures
        v@ == s@,
{
    let mut v: Vec<char> = Vec::new();
    for c in it: s.chars()
        invariant
            it.seq() == s@,
            v@ == it.seq().take(it.index() as int),
    {
        v.push(c);
    }
    v
}

/// Whether `text` begins with `prefix`.
pub fn starts_with(text: &[char], prefix: &[char]) -> (b: bool)
    ensures
        b == prefix@.is_prefix_of(text@),
{
    if prefix.len() > text.len() {
        return false;
    }
    let mut i: usize = 0;
    while i < prefix.len()
        invariant
            prefix@.len() <= text@.len(),
            i <= prefix@.len(),
            forall|j: int| 0 <= j < i ==> text@[j] == prefix@[j],
        decreases prefix@.len() - i,
    {
        if text[i] != prefix[i] {
            return false;
        }
        i += 1;
    }
    true
}

/// Whether `text` ends with `suffix`.
pub fn ends_with(text: &[char], suffix: &[char]) -> (b: bool)
    ensures
        b == suffix@.is_suffix_of(text@),
{
    if suffix.len() > text.len() {
        return false;
    }
    let offset: usize = text.len() - suffix.len();
    let mut i: usize = 0;
    while i < suffix.len()
        invariant
            suffix@.len() <= text@.len() <= usize::MAX,
            offset == text@.len() - suffix@.len(),
            i <= suffix@.len(),
            forall|j: int| 0 <= j < i ==> text@[offset + j] == suffix@[j],
        decreases suffix@.len() - i,
    {
        if text[offset + i] != suffix[i] {
            return false;
        }
        i += 1;
    }
    true
}

/// Whether two texts are the same, character for character.
pub fn same_text(a: &[char], b: &[char]) -> (eq: bool)
    ensures
        eq == (a@ == b@),
{
    if a.len() != b.len() {
        return false;
    }
    let eq = starts_with(a, b);
    assert(a@.subrange(0, a@.len() as int) =~= a@);
    eq
}

} // verus!
