//! Conversions between strings and character vectors.

use vstd::prelude::*;

verus! {

/// Relies on `str::chars`: the characters of the string, in order. A string
/// occupies at most `isize::MAX` bytes and each character at least one.
#[verifier::external_body]
pub(crate) fn chars_of(s: &str) -> (r: Vec<char>)
    ensures
        r@ == s@,
        r@.len() <= isize::MAX,
{
    s.chars().collect()
}

/// Relies on `String::from_iter` over chars: the string holding exactly
/// these characters.
#[verifier::external_body]
pub(crate) fn string_of(v: &Vec<char>) -> (r: String)
    ensures
        r@ == v@,
{
    v.iter().collect()
}

/// Appends the characters of `s` to `out`.
pub(crate) fn push_str_chars(out: &mut Vec<char>, s: &str)
    ensures
        final(out)@ == old(out)@ + s@,
{
    let cs = chars_of(s);
    let mut i: usize = 0;
    while i < cs.len()
        invariant
            0 <= i <= cs@.len(),
            cs@ == s@,
            out@ == old(out)@ + cs@.subrange(0, i as int),
        decreases cs@.len() - i,
    {
        out.push(cs[i]);
        i = i + 1;
        assert(cs@.subrange(0, i as int) == cs@.subrange(0, i - 1) + seq![cs@[i - 1]]);
    }
    assert(cs@.subrange(0, cs@.len() as int) == cs@);
}

} // verus!

verus! {

/// An owned copy of `s`.
pub fn owned(s: &str) -> (r: String)
    ensures
        r@ == s@,
{
    let cs = chars_of(s);
    string_of(&cs)
}

} // verus!
