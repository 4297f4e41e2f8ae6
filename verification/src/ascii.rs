//! The few ASCII character operations that the Telex rules need.
use vstd::prelude::*;

verus! {

/// `c` is an ASCII letter.
pub open spec fn spec_is_ascii_alpha(c: char) -> bool {
    ('a' <= c && c <= 'z') || ('A' <= c && c <= 'Z')
}

/// `c` is an ASCII upper-case letter.
pub open spec fn spec_is_ascii_upper(c: char) -> bool {
    'A' <= c && c <= 'Z'
}

/// `c` with an ASCII upper-case letter turned into lower case; any other
/// character is left as it is.
pub open spec fn spec_ascii_lower(c: char) -> char {
    if spec_is_ascii_upper(c) {
        ((c as u32) + 32) as char
    } else {
        c
    }
}

/// Whether `c` is an ASCII letter.
pub fn is_ascii_alpha(c: char) -> (r: bool)
    ensures
        r == spec_is_ascii_alpha(c),
{
    ('a' <= c && c <= 'z') || ('A' <= c && c <= 'Z')
}

/// Whether `c` is an ASCII upper-case letter.
pub fn is_ascii_upper(c: char) -> (r: bool)
    ensures
        r == spec_is_ascii_upper(c),
{
    'A' <= c && c <= 'Z'
}

/// `c` in ASCII lower case.
pub fn ascii_lower(c: char) -> (r: char)
    ensures
        r == spec_ascii_lower(c),
{
    if 'A' <= c && c <= 'Z' {
        ((c as u8) + 32) as char
    } else {
        c
    }
}

/// Lower-casing moves an ASCII upper-case letter to its lower-case letter,
/// and leaves every other character in place.
pub proof fn lemma_ascii_lower(c: char)
    ensures
        spec_is_ascii_upper(c) ==> spec_ascii_lower(c) as u32 == c as u32 + 32 && 'a' <= spec_ascii_lower(c) <= 'z',
        !spec_is_ascii_upper(c) ==> spec_ascii_lower(c) == c,
{
}

} // verus!
